//! The main window: the state behind it, and what each of its controls does.

use vstd::prelude::*;
use vstd::string::StringExecFns;

use crate::conn::{state_active, state_after, ConnEvent, ConnState, Connection, EventOutcome};
use crate::data::{
    any_active, encode_path, encoded_path, is_default_world, texts, NativePath, SlotItemGroup,
    WorldConnType, WorldFile, WorldFileSlot,
};
use crate::inventory::{lemma_tells_of, tells_of};
use crate::istr::{counted_all, in_use, retained, Istr, StringCache};
use crate::order::arranged;
use crate::rows::{confirm, law_updated_rows_sound, rows_sound};
use crate::search::{case_folded, nfkc, normal_form, normalize_str, updated, SlotSearcher};
use crate::slots::{
    followed, key_before, law_sort_keeps_items, sort_by_keys, sorted_by, stable_order, swap_items,
    swapped,
};
use crate::text::{decimal, joined, lemma_lex_irreflexive, lex_lt, push_decimal, str_eq};

verus! {

broadcast use vstd::string::group_string_axioms;

/// The state of the main window.
#[derive(Debug)]
pub struct App {
    /// Where the world was loaded from or saved to last.
    pub world_path: Option<NativePath>,
    pub world: WorldFile,
    /// Whether the world has changes that are not saved.
    pub world_dirty: bool,
    pub connection: Option<Connection>,
    /// The slot whose inventory is shown.
    pub slot_focus: usize,
    pub slot_searcher: SlotSearcher,
    pub prev_window_title: String,
}

/// Whether the rows of a searcher can be shown once it is up to date.
pub open spec fn searcher_ready(searcher: SlotSearcher) -> bool {
    searcher.stale_inventory_or_type_filter || rows_sound(searcher)
}

/// Whether a searcher is `pre` after its inventory has changed.
pub open spec fn invalidated(pre: SlotSearcher, post: SlotSearcher) -> bool {
    post == SlotSearcher { stale_inventory_or_type_filter: true, ..pre }
}

/// The title of the window.
pub open spec fn window_title(name: Seq<char>, dirty: bool) -> Seq<char> {
    name + (if dirty {
        "*"@
    } else {
        ""@
    }) + " - archiinventory"@
}

/// What has to be written, and where.
#[derive(Debug)]
pub enum SaveTarget<'a> {
    /// To this file.
    Write(&'a NativePath),
    /// To a file that the user is asked for, with this name as a proposal.
    Pick(String),
}

/// The answer to whether to save before the window closes.
#[derive(Debug, Clone, Copy, PartialEq, Eq, Structural)]
pub enum CloseAnswer {
    Yes,
    No,
    Cancel,
}

/// What a request to close the window leads to.
#[derive(Debug, Clone, Copy, PartialEq, Eq, Structural)]
pub enum CloseAction {
    /// The window closes.
    Close,
    /// The world is saved, and the window closes.
    Save,
    /// The window stays.
    Stay,
}

/// The button beside those that change the slots.
#[derive(Debug, Clone, Copy, PartialEq, Eq, Structural)]
pub enum ConnButton {
    Cancel,
    /// Can be clicked where any slot is active.
    Refresh { enabled: bool },
}

impl App {
    pub open spec fn wf(&self) -> bool {
        &&& self.slot_focus < usize::MAX
        &&& searcher_ready(self.slot_searcher)
    }

    /// The state that the program starts with: the world that was open last,
    /// where it could be loaded, or a new one.
    pub fn new(restored: Option<(NativePath, WorldFile)>) -> (r: Self)
        ensures
            r.wf(),
            match restored {
                Some(found) => r.world_path == Some(found.0) && r.world == found.1,
                None => r.world_path is None && is_default_world(r.world),
            },
            !r.world_dirty,
            r.connection is None,
            r.slot_focus == 0,
            r.slot_searcher.stale_inventory_or_type_filter,
            r.prev_window_title@ == Seq::<char>::empty(),
    {
        let mut app = App {
            world_path: None,
            world: WorldFile::default(),
            world_dirty: false,
            connection: None,
            slot_focus: 0,
            slot_searcher: SlotSearcher::default(),
            prev_window_title: String::new(),
        };
        if let Some((path, world)) = restored {
            app.load_world(Some(path), world, false);
        }
        app
    }

    /// Takes another world. Where the old one has changes that are not saved,
    /// only if the user has agreed to lose them.
    pub fn load_world(&mut self, path: Option<NativePath>, world: WorldFile, agreed: bool)
        requires
            old(self).wf(),
        ensures
            final(self).wf(),
            if !old(self).world_dirty || agreed {
                &&& final(self).world_path == path
                &&& final(self).world == world
                &&& !final(self).world_dirty
                &&& final(self).connection is None
                &&& final(self).slot_focus == old(self).slot_focus
                &&& invalidated(old(self).slot_searcher, final(self).slot_searcher)
                &&& final(self).prev_window_title == old(self).prev_window_title
            } else {
                *final(self) == *old(self)
            },
    {
        if !self.world_dirty || agreed {
            self.world_path = path;
            self.world = world;
            self.world_dirty = false;
            self.connection = None;
            self.slot_searcher.inventory_changed();
        }
    }

    /// Where the world is to be saved: to its file, or to one that the user is
    /// asked for, where it has none or another is wanted.
    pub fn save_target(&self, force_save_as: bool) -> (r: SaveTarget<'_>)
        ensures
            match self.world_path {
                Some(path) if !force_save_as => r is Write && *r->Write_0 == path,
                _ => r is Pick && r->Pick_0@ == self.world.name@ + ".json"@,
            },
    {
        if !force_save_as {
            if let Some(path) = &self.world_path {
                return SaveTarget::Write(path);
            }
        }
        SaveTarget::Pick(joined(self.world.name.as_str(), ".json"))
    }

    /// Takes the file that the user has chosen for the world.
    pub fn set_path(&mut self, path: NativePath)
        ensures
            *final(self) == (App { world_path: Some(path), ..*old(self) }),
    {
        self.world_path = Some(path);
    }

    /// Takes over whether the world could be written. To write nothing because
    /// the user has chosen no file counts as success.
    pub fn saved(&mut self, success: bool)
        ensures
            *final(self) == (App {
                world_dirty: old(self).world_dirty && !success,
                ..*old(self)
            }),
    {
        if success {
            self.world_dirty = false;
        }
    }

    /// The title of the window, where it has changed since the last call.
    pub fn update_window_title(&mut self) -> (r: Option<String>)
        ensures
            ({
                let title = window_title(old(self).world.name@, old(self).world_dirty);
                &&& *final(self) == (App {
                    prev_window_title: final(self).prev_window_title,
                    ..*old(self)
                })
                &&& final(self).prev_window_title@ == title
                &&& (r is Some) == (title != old(self).prev_window_title@)
                &&& r matches Some(text) ==> text@ == title
            }),
    {
        let mut title = self.world.name.clone();
        let mark = if self.world_dirty {
            "*"
        } else {
            ""
        };
        title.append(mark);
        title.append(" - archiinventory");
        if str_eq(title.as_str(), self.prev_window_title.as_str()) {
            return None;
        }
        self.prev_window_title = title.clone();
        Some(title)
    }

    /// Notes that the world has changes that are not saved.
    pub fn mark_dirty(&mut self)
        ensures
            *final(self) == (App { world_dirty: true, ..*old(self) }),
    {
        self.world_dirty = true;
    }

    /// Whether the user has to be asked before the window closes.
    pub fn asks_before_close(&self, close_requested: bool) -> (r: bool)
        ensures
            r == (close_requested && self.world_dirty),
    {
        close_requested && self.world_dirty
    }

    /// What the connection button is.
    pub fn conn_button(&self) -> (r: ConnButton)
        ensures
            r == match self.connection {
                Some(conn) if state_active(conn.state) => ConnButton::Cancel,
                _ => ConnButton::Refresh { enabled: any_active(self.world.slots@) },
            },
    {
        if let Some(conn) = &self.connection {
            if conn.active() {
                return ConnButton::Cancel;
            }
        }
        ConnButton::Refresh { enabled: self.world.has_active_slot() }
    }

    /// Drops the connection.
    pub fn cancel(&mut self)
        ensures
            *final(self) == (App { connection: None, ..*old(self) }),
    {
        self.connection = None;
    }

    /// Takes a new connection.
    pub fn set_connection(&mut self, connection: Connection)
        ensures
            *final(self) == (App { connection: Some(connection), ..*old(self) }),
    {
        self.connection = Some(connection);
    }

    /// Chooses how the world is reached.
    pub fn set_conn_type(&mut self, conn_type: WorldConnType)
        ensures
            *final(self) == (App {
                world: WorldFile { conn_type, ..old(self).world },
                world_dirty: true,
                ..*old(self)
            }),
    {
        self.world.conn_type = conn_type;
        self.mark_dirty();
    }
}

/// What the answer to whether to save leads to.
pub fn close_action(answer: CloseAnswer) -> (r: CloseAction)
    ensures
        r == match answer {
            CloseAnswer::Yes => CloseAction::Save,
            CloseAnswer::No => CloseAction::Close,
            CloseAnswer::Cancel => CloseAction::Stay,
        },
{
    match answer {
        CloseAnswer::Yes => CloseAction::Save,
        CloseAnswer::No => CloseAction::Close,
        CloseAnswer::Cancel => CloseAction::Stay,
    }
}

/// What the user has asked to be done with the list of slots.
#[derive(Debug, Clone, Copy, PartialEq, Eq, Structural)]
pub enum SlotAction {
    Keep,
    Swap(usize, usize),
    Remove(usize),
}

/// The keys that were pressed while the name of a slot was edited.
#[derive(Debug, Clone, Copy, PartialEq, Eq, Structural)]
pub struct SlotKeys {
    pub up: bool,
    pub down: bool,
    pub move_up: bool,
    pub move_down: bool,
    pub toggle: bool,
    pub delete: bool,
}

/// What has happened in the row of one slot.
#[derive(Debug, Clone, Copy, PartialEq, Eq, Structural)]
pub struct SlotInput {
    /// The name or the check box has been changed.
    pub edited: bool,
    /// The button that shows the slot's inventory was clicked.
    pub viewed: bool,
    /// The name was empty before the row was shown.
    pub was_empty: bool,
    /// The pressed keys, where the name has the keyboard focus.
    pub keys: Option<SlotKeys>,
}

/// One pass over the rows of all slots.
#[derive(Debug, Clone, Copy, PartialEq, Eq, Structural)]
pub struct SlotPass {
    pub action: SlotAction,
    /// Whether the next row gets the keyboard focus.
    pub next_focus: bool,
    pub changed: bool,
}

impl SlotPass {
    /// A pass before the first row.
    pub fn new() -> (r: Self)
        ensures
            r == (SlotPass { action: SlotAction::Keep, next_focus: false, changed: false }),
    {
        SlotPass { action: SlotAction::Keep, next_focus: false, changed: false }
    }

    /// Whether the row that comes now gets the keyboard focus.
    pub fn take_focus(&mut self) -> (r: bool)
        ensures
            r == old(self).next_focus,
            *final(self) == (SlotPass { next_focus: false, ..*old(self) }),
    {
        let take = self.next_focus;
        self.next_focus = false;
        take
    }
}

/// Whether the keys lead to the row above.
pub open spec fn goes_up(i: int, input: SlotInput) -> bool {
    input.keys is Some && (input.keys->Some_0.up || input.keys->Some_0.move_up) && i > 0
}

/// Whether the keys lead to the row below.
pub open spec fn goes_down(i: int, len: int, input: SlotInput) -> bool {
    input.keys is Some && (input.keys->Some_0.down || input.keys->Some_0.move_down) && i < len - 1
}

/// Whether the keys delete the row.
pub open spec fn deletes(input: SlotInput) -> bool {
    input.keys is Some && input.was_empty && input.keys->Some_0.delete
}

/// Whether the keys turn the slot on or off.
pub open spec fn toggles(input: SlotInput) -> bool {
    input.keys is Some && input.keys->Some_0.toggle
}

/// What is to be done with the slots after a row: the last request counts.
pub open spec fn row_action(
    action: SlotAction,
    i: int,
    len: int,
    input: SlotInput,
) -> SlotAction {
    if deletes(input) {
        SlotAction::Remove(i as usize)
    } else if goes_down(i, len, input) && input.keys->Some_0.move_down {
        SlotAction::Swap(i as usize, (i + 1) as usize)
    } else if goes_up(i, input) && input.keys->Some_0.move_up {
        SlotAction::Swap((i - 1) as usize, i as usize)
    } else {
        action
    }
}

/// Whether an action speaks of slots that exist.
pub open spec fn action_fits(action: SlotAction, len: int) -> bool {
    match action {
        SlotAction::Keep => true,
        SlotAction::Swap(a, b) => a < len && b < len,
        SlotAction::Remove(i) => i < len,
    }
}

/// What the row of slot `i` does to the state and to the pass, and whether the
/// row above gets the keyboard focus.
pub open spec fn row_handled(
    pre: App,
    pass: SlotPass,
    i: int,
    input: SlotInput,
    post: App,
    after: SlotPass,
    above: bool,
) -> bool {
    let len = pre.world.slots@.len() as int;
    let slot = pre.world.slots@[i];
    &&& above == (goes_up(i, input) || (deletes(input) && i == len - 1 && i > 0))
    &&& after == SlotPass {
        action: row_action(pass.action, i, len, input),
        next_focus: pass.next_focus || goes_down(i, len, input),
        changed: pass.changed || input.edited || toggles(input),
    }
    &&& post.world.slots@ == pre.world.slots@.update(
        i,
        WorldFileSlot { active: slot.active != toggles(input), ..slot },
    )
    &&& post == (App {
        world: WorldFile { slots: post.world.slots, ..pre.world },
        slot_focus: if input.viewed {
            i as usize
        } else {
            pre.slot_focus
        },
        slot_searcher: post.slot_searcher,
        ..pre
    })
    &&& if input.viewed {
        invalidated(pre.slot_searcher, post.slot_searcher)
    } else {
        post.slot_searcher == pre.slot_searcher
    }
}

/// What the end of a pass does to the state.
pub open spec fn rows_ended(pre: App, pass: SlotPass, post: App) -> bool {
    &&& post.world.slots@ == match pass.action {
        SlotAction::Keep => pre.world.slots@,
        SlotAction::Swap(a, b) => swapped(pre.world.slots@, a as int, b as int),
        SlotAction::Remove(i) => pre.world.slots@.remove(i as int),
    }
    &&& post.slot_focus == match pass.action {
        SlotAction::Swap(a, b) => followed(pre.slot_focus as int, a as int, b as int),
        _ => pre.slot_focus as int,
    }
    &&& post.world_dirty == (pre.world_dirty || pass.changed || !(pass.action is Keep))
    &&& post == (App {
        world: WorldFile { slots: post.world.slots, ..pre.world },
        slot_focus: post.slot_focus,
        world_dirty: post.world_dirty,
        ..pre
    })
}

/// What a slot's view button shows.
pub open spec fn view_label(new_items: nat) -> Seq<char> {
    if new_items == 0 {
        "\u{2796}"@
    } else {
        "\u{271A} "@ + decimal(new_items)
    }
}

/// What a slot's view button shows: how many items are new.
pub fn view_text(slot: &WorldFileSlot) -> (r: String)
    ensures
        r@ == view_label(
            if slot.total_items > slot.confirmed {
                (slot.total_items - slot.confirmed) as nat
            } else {
                0
            },
        ),
{
    let new_items: usize = slot.new_items();
    if new_items == 0 {
        return "\u{2796}".to_owned();
    }
    let mut out = "\u{271A} ".to_owned();
    push_decimal(&mut out, new_items as u64);
    out
}

impl App {
    /// Takes over what has happened in the row of slot `i`. Returns whether the
    /// row above gets the keyboard focus.
    pub fn slot_row(&mut self, pass: &mut SlotPass, i: usize, input: SlotInput) -> (r: bool)
        requires
            old(self).wf(),
            i < old(self).world.slots@.len(),
            action_fits(old(pass).action, old(self).world.slots@.len() as int),
        ensures
            final(self).wf(),
            action_fits(final(pass).action, final(self).world.slots@.len() as int),
            row_handled(
                *old(self),
                *old(pass),
                i as int,
                input,
                *final(self),
                *final(pass),
                r,
            ),
    {
        let last: usize = self.world.slots.len() - 1;
        let mut above = false;
        if input.edited {
            pass.changed = true;
        }
        if input.viewed {
            self.slot_focus = i;
            self.slot_searcher.inventory_changed();
        }
        if let Some(keys) = input.keys {
            if (keys.up || keys.move_up) && i > 0 {
                above = true;
                if keys.move_up {
                    pass.action = SlotAction::Swap(i - 1, i);
                }
            }
            if (keys.down || keys.move_down) && i < last {
                pass.next_focus = true;
                if keys.move_down {
                    pass.action = SlotAction::Swap(i, i + 1);
                }
            }
            if input.was_empty && keys.delete {
                pass.action = SlotAction::Remove(i);
                if i == last && i > 0 {
                    above = true;
                }
            }
            if keys.toggle {
                let active = self.world.slots[i].active;
                self.world.slots[i].active = !active;
                pass.changed = true;
            }
        }
        assert(self.world.slots@ =~= old(self).world.slots@.update(
            i as int,
            WorldFileSlot {
                active: old(self).world.slots@[i as int].active != toggles(input),
                ..old(self).world.slots@[i as int]
            },
        ));
        above
    }

    /// Ends a pass over the rows: does what was asked for with the slots, and
    /// notes whether anything was changed. The slot in view stays in view when
    /// it is moved.
    pub fn end_rows(&mut self, pass: SlotPass)
        requires
            old(self).wf(),
            action_fits(pass.action, old(self).world.slots@.len() as int),
        ensures
            final(self).wf(),
            rows_ended(*old(self), pass, *final(self)),
    {
        let mut changed = pass.changed;
        match pass.action {
            SlotAction::Keep => {},
            SlotAction::Swap(a, b) => {
                assert(self.world.slots.len() <= usize::MAX);
                swap_items(&mut self.world.slots, a, b);
                if self.slot_focus == a {
                    self.slot_focus = b;
                } else if self.slot_focus == b {
                    self.slot_focus = a;
                }
                changed = true;
            },
            SlotAction::Remove(i) => {
                let _ = self.world.slots.remove(i);
                changed = true;
            },
        }
        if changed {
            self.mark_dirty();
        }
    }

    /// Sorts the slots by their names. Slots whose names differ in nothing that
    /// the search cares about keep their order.
    pub fn sort_slots(&mut self)
        requires
            old(self).wf(),
        ensures
            final(self).wf(),
            sorted_by(
                old(self).world.slots@,
                old(self).world.slots@.map_values(|slot: WorldFileSlot| normal_form(slot.name@)),
                final(self).world.slots@,
            ),
            *final(self) == (App {
                world: WorldFile { slots: final(self).world.slots, ..old(self).world },
                world_dirty: true,
                ..*old(self)
            }),
    {
        let mut keys: Vec<String> = Vec::new();
        let mut i: usize = 0;
        while i < self.world.slots.len()
            invariant
                i <= self.world.slots@.len(),
                keys@.len() == i,
                forall|k: int|
                    0 <= k < i ==> (#[trigger] keys@[k])@ == normal_form(
                        self.world.slots@[k].name@,
                    ),
            decreases self.world.slots@.len() - i,
        {
            keys.push(normalize_str(self.world.slots[i].name.as_str()));
            i += 1;
        }
        let mut taken: Vec<WorldFileSlot> = Vec::new();
        std::mem::swap(&mut taken, &mut self.world.slots);
        assert(texts(keys@) =~= taken@.map_values(
            |slot: WorldFileSlot| normal_form(slot.name@),
        ));
        self.world.slots = sort_by_keys(taken, &keys);
        self.mark_dirty();
    }

    /// Adds a new slot behind the others.
    pub fn add_slot(&mut self)
        requires
            old(self).wf(),
        ensures
            final(self).wf(),
            final(self).world.slots@.len() == old(self).world.slots@.len() + 1,
            final(self).world.slots@.drop_last() == old(self).world.slots@,
            final(self).world.slots@.last().name@ == Seq::<char>::empty(),
            final(self).world.slots@.last().active,
            final(self).world.slots@.last().confirmed == 0,
            final(self).world.slots@.last().total_items == 0,
            final(self).world.slots@.last().inventory@ == Seq::<SlotItemGroup>::empty(),
            *final(self) == (App {
                world: WorldFile { slots: final(self).world.slots, ..old(self).world },
                world_dirty: true,
                ..*old(self)
            }),
    {
        self.world.slots.push(WorldFileSlot::default());
        assert(self.world.slots@.drop_last() =~= old(self).world.slots@);
        self.mark_dirty();
    }
}

/// The position of the first slot with a name, or how many slots there are.
pub open spec fn slot_named(slots: Seq<WorldFileSlot>, name: Seq<char>) -> nat
    decreases slots.len(),
{
    if slots.len() == 0 {
        0
    } else if slots[0].name@ == name {
        0
    } else {
        1 + slot_named(slots.drop_first(), name)
    }
}

/// The first slot with a name is found, and none before it has the name.
pub proof fn lemma_slot_named(slots: Seq<WorldFileSlot>, name: Seq<char>)
    ensures
        slot_named(slots, name) <= slots.len(),
        slot_named(slots, name) < slots.len() ==> slots[slot_named(slots, name) as int].name@ == name,
        forall|k: int| 0 <= k < slot_named(slots, name) ==> (#[trigger] slots[k]).name@ != name,
    decreases slots.len(),
{
    if slots.len() > 0 && slots[0].name@ != name {
        let rest = slots.drop_first();
        lemma_slot_named(rest, name);
        assert forall|k: int| 0 <= k < slot_named(slots, name) implies (
        #[trigger] slots[k]).name@ != name by {
            if k > 0 {
                assert(rest[k - 1] == slots[k]);
            }
        }
    }
}

/// A slot that has received other items. What was confirmed beyond them is not
/// confirmed any more.
pub open spec fn supplied(
    slot: WorldFileSlot,
    total_items: usize,
    inventory: Vec<SlotItemGroup>,
) -> WorldFileSlot {
    WorldFileSlot {
        total_items,
        confirmed: if slot.confirmed > total_items {
            total_items
        } else {
            slot.confirmed
        },
        inventory,
        ..slot
    }
}

/// What the delivery of items for a slot does to the state.
pub open spec fn delivered(
    pre: App,
    name: Seq<char>,
    total_items: usize,
    inventory: Vec<SlotItemGroup>,
    post: App,
) -> bool {
    let at = slot_named(pre.world.slots@, name) as int;
    if at < pre.world.slots@.len() {
        let slot = pre.world.slots@[at];
        &&& post == (App {
            world: WorldFile { slots: post.world.slots, ..pre.world },
            world_dirty: pre.world_dirty || slot.confirmed > total_items,
            slot_searcher: post.slot_searcher,
            ..pre
        })
        &&& post.world.slots@ == pre.world.slots@.update(at, supplied(slot, total_items, inventory))
        &&& if pre.slot_focus == at {
            invalidated(pre.slot_searcher, post.slot_searcher)
        } else {
            post.slot_searcher == pre.slot_searcher
        }
    } else {
        post == pre
    }
}

impl App {
    /// Takes over the items of the first slot with the given name.
    pub fn deliver(&mut self, name: &str, total_items: usize, inventory: Vec<SlotItemGroup>)
        requires
            old(self).wf(),
        ensures
            final(self).wf(),
            delivered(*old(self), name@, total_items, inventory, *final(self)),
    {
        let mut i: usize = 0;
        proof {
            lemma_slot_named(self.world.slots@, name@);
        }
        while i < self.world.slots.len()
            invariant
                *self == *old(self),
                i <= slot_named(self.world.slots@, name@) <= self.world.slots@.len(),
                slot_named(self.world.slots@, name@) < self.world.slots@.len()
                    ==> self.world.slots@[slot_named(self.world.slots@, name@) as int].name@
                    == name@,
                forall|k: int|
                    0 <= k < slot_named(self.world.slots@, name@) ==> (
                    #[trigger] self.world.slots@[k]).name@ != name@,
                old(self).wf(),
            decreases self.world.slots@.len() - i,
        {
            if str_eq(self.world.slots[i].name.as_str(), name) {
                assert(i == slot_named(self.world.slots@, name@));
                self.world.slots[i].total_items = total_items;
                if self.world.slots[i].confirmed > total_items {
                    self.world.slots[i].confirmed = total_items;
                    self.mark_dirty();
                }
                self.world.slots[i].inventory = inventory;
                if self.slot_focus == i {
                    self.slot_searcher.inventory_changed();
                }
                assert(self.world.slots@ =~= old(self).world.slots@.update(
                    i as int,
                    supplied(old(self).world.slots@[i as int], total_items, inventory),
                ));
                return ;
            }
            i += 1;
        }
    }

    /// Takes over a report of the connection's worker. Returns whether the
    /// connection is finished. Where it was before, or where there is none,
    /// nothing changes.
    pub fn on_event(&mut self, event: ConnEvent) -> (finished: bool)
        requires
            old(self).wf(),
        ensures
            final(self).wf(),
            match old(self).connection {
                Some(conn) if state_active(conn.state) => {
                    &&& finished == (event is Error || event is Done)
                    &&& match event {
                        ConnEvent::SlotData(name, total_items, inventory) => delivered(
                            *old(self),
                            name@,
                            total_items,
                            inventory,
                            *final(self),
                        ),
                        _ => *final(self) == (App {
                            connection: Some(Connection { state: state_after(conn.state, event) }),
                            ..*old(self)
                        }),
                    }
                },
                _ => finished && *final(self) == *old(self),
            },
    {
        let outcome = match self.connection.take() {
            Some(mut conn) => {
                let outcome = conn.on_event(event);
                self.connection = Some(conn);
                outcome
            },
            None => EventOutcome::Finished,
        };
        match outcome {
            EventOutcome::Continue => false,
            EventOutcome::Deliver(name, total_items, inventory) => {
                assert(*self == *old(self));
                self.deliver(name.as_str(), total_items, inventory);
                false
            },
            EventOutcome::Finished => true,
        }
    }

    /// Takes over that the connection's worker has panicked. Where it had
    /// finished before, or where there is none, nothing changes.
    pub fn on_panic(&mut self, message: Option<String>)
        ensures
            match old(self).connection {
                Some(conn) if state_active(conn.state) => {
                    &&& *final(self) == (App { connection: final(self).connection, ..*old(self) })
                    &&& final(self).connection is Some
                    &&& final(self).connection->Some_0.state is Error
                    &&& final(self).connection->Some_0.state->Error_0@ == match message {
                        Some(text) => text@,
                        None => "thread panic with non-string message"@,
                    }
                },
                _ => *final(self) == *old(self),
            },
    {
        if let Some(mut conn) = self.connection.take() {
            conn.on_panic(message);
            self.connection = Some(conn);
        }
    }
}

/// The slot in view after the keys for the next and the previous slot.
pub open spec fn moved_focus(focus: int, up: bool, down: bool, len: int) -> int {
    let above = if up && focus > 0 {
        focus - 1
    } else {
        focus
    };
    let below = if down {
        above + 1
    } else {
        above
    };
    if below >= len {
        len - 1
    } else {
        below
    }
}

impl App {
    /// Moves to the previous or the next slot, and to the last where there is
    /// none. Returns the slot in view, if there are slots.
    pub fn navigate(&mut self, up: bool, down: bool) -> (r: Option<usize>)
        requires
            old(self).wf(),
        ensures
            final(self).wf(),
            if old(self).world.slots@.len() == 0 {
                r is None && *final(self) == *old(self)
            } else {
                let len = old(self).world.slots@.len() as int;
                let before = old(self).slot_focus as int;
                &&& r == Some(final(self).slot_focus)
                &&& final(self).slot_focus == moved_focus(before, up, down, len)
                &&& final(self).slot_focus < final(self).world.slots@.len()
                &&& *final(self) == (App {
                    slot_focus: final(self).slot_focus,
                    slot_searcher: final(self).slot_searcher,
                    ..*old(self)
                })
                &&& if (up && before > 0) || down || before >= len {
                    invalidated(old(self).slot_searcher, final(self).slot_searcher)
                } else {
                    final(self).slot_searcher == old(self).slot_searcher
                }
            },
    {
        if self.world.slots.len() == 0 {
            return None;
        }
        if up && self.slot_focus > 0 {
            self.slot_focus = self.slot_focus - 1;
            self.slot_searcher.inventory_changed();
        }
        if down {
            self.slot_focus = self.slot_focus + 1;
            self.slot_searcher.inventory_changed();
        }
        if self.slot_focus >= self.world.slots.len() {
            self.slot_focus = self.world.slots.len() - 1;
            self.slot_searcher.inventory_changed();
        }
        Some(self.slot_focus)
    }

    /// Confirms all items of the slot in view.
    pub fn confirm_focused(&mut self)
        requires
            old(self).wf(),
            old(self).slot_focus < old(self).world.slots@.len(),
        ensures
            final(self).wf(),
            ({
                let at = old(self).slot_focus as int;
                let slot = old(self).world.slots@[at];
                &&& final(self).world.slots@ == old(self).world.slots@.update(
                    at,
                    WorldFileSlot { confirmed: slot.total_items, ..slot },
                )
                &&& *final(self) == (App {
                    world: WorldFile { slots: final(self).world.slots, ..old(self).world },
                    world_dirty: true,
                    ..*old(self)
                })
            }),
    {
        let at: usize = self.slot_focus;
        confirm(&mut self.world.slots[at]);
        assert(self.world.slots@ =~= old(self).world.slots@.update(
            at as int,
            WorldFileSlot {
                confirmed: old(self).world.slots@[at as int].total_items,
                ..old(self).world.slots@[at as int]
            },
        ));
        self.mark_dirty();
    }

    /// Brings the rows of the slot in view up to date.
    pub fn refresh_rows(&mut self)
        requires
            old(self).wf(),
            old(self).slot_focus < old(self).world.slots@.len(),
        ensures
            final(self).wf(),
            rows_sound(final(self).slot_searcher),
            updated(
                old(self).slot_searcher,
                old(self).world.slots@[old(self).slot_focus as int].inventory@,
                old(self).world.slots@[old(self).slot_focus as int].confirmed as int,
                final(self).slot_searcher,
            ),
            *final(self) == (App { slot_searcher: final(self).slot_searcher, ..*old(self) }),
    {
        let slot = &self.world.slots[self.slot_focus];
        self.slot_searcher.update(&slot.inventory, slot.confirmed);
        proof {
            law_updated_rows_sound(
                old(self).slot_searcher,
                slot.inventory@,
                slot.confirmed as int,
                self.slot_searcher,
            );
        }
    }

    /// What is to be kept for the next start: the place of the world. Strings
    /// that nothing uses any more are dropped from the cache, as [`Istr::gc`]
    /// does.
    pub fn save(&self, cache: &mut StringCache) -> (r: Option<String>)
        requires
            old(cache).wf(),
        ensures
            final(cache).wf(),
            exists|counts: Seq<usize>|
                #![trigger in_use(counts)]
                counted_all(old(cache).strings(), counts) && final(cache).strings() == retained(
                    old(cache).strings(),
                    in_use(counts),
                ) && final(cache).texts() == retained(old(cache).texts(), in_use(counts)),
            final(cache)@.subset_of(old(cache)@),
            match self.world_path {
                Some(path) => r is Some && r->Some_0@ == encoded_path(path),
                None => r is None,
            },
    {
        let stored = match &self.world_path {
            Some(path) => Some(encode_path(path)),
            None => None,
        };
        let _ = Istr::gc(cache);
        stored
    }
}

/// A slot never has more confirmed than received items after a delivery.
pub proof fn law_delivery_bounds_confirmed(
    pre: App,
    name: Seq<char>,
    total_items: usize,
    inventory: Vec<SlotItemGroup>,
    post: App,
)
    requires
        delivered(pre, name, total_items, inventory, post),
        slot_named(pre.world.slots@, name) < pre.world.slots@.len(),
    ensures
        ({
            let at = slot_named(pre.world.slots@, name) as int;
            &&& post.world.slots@[at].confirmed <= post.world.slots@[at].total_items
            &&& post.world.slots@[at].name@ == name
        }),
{
    lemma_slot_named(pre.world.slots@, name);
}

/// A delivery leaves every slot but one as it was, and adds and removes none.
pub proof fn law_delivery_touches_one_slot(
    pre: App,
    name: Seq<char>,
    total_items: usize,
    inventory: Vec<SlotItemGroup>,
    post: App,
    i: int,
)
    requires
        delivered(pre, name, total_items, inventory, post),
        0 <= i < pre.world.slots@.len(),
        i != slot_named(pre.world.slots@, name),
    ensures
        post.world.slots@.len() == pre.world.slots@.len(),
        post.world.slots@[i] == pre.world.slots@[i],
{
    lemma_slot_named(pre.world.slots@, name);
}

/// The key for the next slot and then the one for the previous slot lead back,
/// except from the last slot.
pub proof fn law_navigation_undone(focus: int, len: int)
    requires
        0 <= focus < len - 1,
    ensures
        moved_focus(moved_focus(focus, false, true, len), true, false, len) == focus,
{
}

/// What is written to a file of a slot: what it has received is not.
pub open spec fn saved_slots(slots: Seq<WorldFileSlot>) -> Seq<(Seq<char>, bool, usize)> {
    slots.map_values(|slot: WorldFileSlot| (slot.name@, slot.active, slot.confirmed))
}

/// Where a delivery changes anything that is written to a file, the world has
/// changes that are not saved.
pub proof fn law_delivery_marks_changes(
    pre: App,
    name: Seq<char>,
    total_items: usize,
    inventory: Vec<SlotItemGroup>,
    post: App,
)
    requires
        delivered(pre, name, total_items, inventory, post),
        !post.world_dirty,
    ensures
        saved_slots(post.world.slots@) == saved_slots(pre.world.slots@),
        post.world.name == pre.world.name,
        post.world.conn_type == pre.world.conn_type,
        post.world.address == pre.world.address,
        post.world.password == pre.world.password,
{
    lemma_slot_named(pre.world.slots@, name);
    assert(saved_slots(post.world.slots@) =~= saved_slots(pre.world.slots@));
}

/// Where a row and the end of the pass change anything that is written to a
/// file, the world has changes that are not saved.
pub proof fn law_rows_mark_changes(
    pre: App,
    pass: SlotPass,
    i: int,
    input: SlotInput,
    mid: App,
    after: SlotPass,
    above: bool,
    post: App,
)
    requires
        0 <= i < pre.world.slots@.len(),
        row_handled(pre, pass, i, input, mid, after, above),
        rows_ended(mid, after, post),
        !post.world_dirty,
    ensures
        !input.edited,
        saved_slots(post.world.slots@) == saved_slots(pre.world.slots@),
{
    assert(saved_slots(post.world.slots@) =~= saved_slots(pre.world.slots@));
}

/// The slot in view stays in view when it or another slot is moved.
pub proof fn law_moved_slot_stays_in_view(pre: App, pass: SlotPass, post: App)
    requires
        rows_ended(pre, pass, post),
        pass.action is Swap,
        action_fits(pass.action, pre.world.slots@.len() as int),
        pre.slot_focus < pre.world.slots@.len(),
    ensures
        post.slot_focus < post.world.slots@.len(),
        post.world.slots@[post.slot_focus as int] == pre.world.slots@[pre.slot_focus as int],
{
}

/// A delivery goes to the first slot with the name. The slot has the new items
/// then, and as many of them are confirmed as were before, or all where there are
/// fewer now. So the items that have just come are new. Only where fewer are
/// confirmed than before is there anything to save.
pub proof fn law_delivery_keeps_what_was_confirmed(
    app: &mut App,
    name: &str,
    total_items: usize,
    inventory: Vec<SlotItemGroup>,
    at: int,
)
    requires
        old(app).wf(),
        call_ensures(App::deliver, (app, name, total_items, inventory), ()),
        0 <= at < old(app).world.slots@.len(),
        old(app).world.slots@[at].name@ == name@,
        forall|k: int| 0 <= k < at ==> (#[trigger] old(app).world.slots@[k]).name@ != name@,
    ensures
        final(app).world.slots@.len() == old(app).world.slots@.len(),
        ({
            let before = old(app).world.slots@[at];
            let after = final(app).world.slots@[at];
            &&& after.total_items == total_items
            &&& after.inventory == inventory
            &&& before.confirmed <= total_items ==> after.confirmed == before.confirmed
            &&& before.confirmed > total_items ==> after.confirmed == total_items
            &&& after.name == before.name
            &&& after.active == before.active
            &&& final(app).world_dirty == (old(app).world_dirty || before.confirmed > total_items)
        }),
        forall|i: int|
            0 <= i < old(app).world.slots@.len() && i != at ==> #[trigger] final(app).world.slots@[i] == old(app).world.slots@[i],
        old(app).slot_focus == at ==> final(app).slot_searcher.stale_inventory_or_type_filter,
        old(app).slot_focus != at ==> final(app).slot_searcher == old(app).slot_searcher,
        final(app).slot_searcher.filter_type == old(app).slot_searcher.filter_type,
        final(app).slot_searcher.filter_name == old(app).slot_searcher.filter_name,
        final(app).slot_searcher.sort_order == old(app).slot_searcher.sort_order,
        final(app).slot_focus == old(app).slot_focus,
        final(app).connection == old(app).connection,
        final(app).world_path == old(app).world_path,
        final(app).world.name == old(app).world.name,
        final(app).world.address == old(app).world.address,
        final(app).world.password == old(app).world.password,
        final(app).world.conn_type == old(app).world.conn_type,
{
    let slots = old(app).world.slots@;
    lemma_slot_named(slots, name@);
    if slot_named(slots, name@) < at {
        assert(slots[slot_named(slots, name@) as int].name@ != name@);
    }
    assert(slot_named(slots, name@) == at);
}

/// After a delivery of at least as many items as the slot has confirmed, its new
/// items are those beyond them.
pub proof fn law_delivered_items_are_new(
    app: &mut App,
    name: &str,
    total_items: usize,
    inventory: Vec<SlotItemGroup>,
    at: int,
    fresh: usize,
)
    requires
        old(app).wf(),
        call_ensures(App::deliver, (app, name, total_items, inventory), ()),
        0 <= at < old(app).world.slots@.len(),
        old(app).world.slots@[at].name@ == name@,
        forall|k: int| 0 <= k < at ==> (#[trigger] old(app).world.slots@[k]).name@ != name@,
        old(app).world.slots@[at].confirmed <= total_items,
        call_ensures(WorldFileSlot::new_items, (&final(app).world.slots@[at],), fresh),
    ensures
        fresh == total_items - old(app).world.slots@[at].confirmed,
{
    law_delivery_keeps_what_was_confirmed(app, name, total_items, inventory, at);
}

/// A delivery for a name that no slot has changes nothing.
pub proof fn law_delivery_for_nobody(
    app: &mut App,
    name: &str,
    total_items: usize,
    inventory: Vec<SlotItemGroup>,
)
    requires
        old(app).wf(),
        call_ensures(App::deliver, (app, name, total_items, inventory), ()),
        forall|k: int|
            0 <= k < old(app).world.slots@.len() ==> (#[trigger] old(app).world.slots@[k]).name@
                != name@,
    ensures
        *final(app) == *old(app),
{
    lemma_slot_named(old(app).world.slots@, name@);
}

/// A report of items is a delivery and leaves the connection as it is; every other
/// report is for the connection alone. Without a worker nothing happens.
pub proof fn law_reports_reach_slots_and_connection(
    app: &mut App,
    event: ConnEvent,
    finished: bool,
)
    requires
        old(app).wf(),
        call_ensures(App::on_event, (app, event), finished),
    ensures
        ({
            let working = old(app).connection is Some && (old(app).connection->Some_0.state is Client
                || old(app).connection->Some_0.state is Room);
            &&& !working ==> finished && *final(app) == *old(app)
            &&& working ==> final(app).connection is Some
            &&& working && event is SlotData ==> {
                &&& !finished
                &&& final(app).connection == old(app).connection
                &&& forall|at: int|
                    0 <= at < old(app).world.slots@.len() && (
                    #[trigger] old(app).world.slots@[at]).name@ == event->SlotData_0@ && (forall|
                        k: int,
                    |
                        0 <= k < at ==> (#[trigger] old(app).world.slots@[k]).name@
                            != event->SlotData_0@) ==> {
                        let before = old(app).world.slots@[at];
                        let after = final(app).world.slots@[at];
                        &&& after.total_items == event->SlotData_1
                        &&& after.inventory == event->SlotData_2
                        &&& after.confirmed == if before.confirmed > event->SlotData_1 {
                            event->SlotData_1
                        } else {
                            before.confirmed
                        }
                    }
            }
            &&& working && !(event is SlotData) ==> {
                &&& final(app).world == old(app).world
                &&& final(app).world_dirty == old(app).world_dirty
                &&& final(app).slot_searcher == old(app).slot_searcher
                &&& finished == (event is Error || event is Done)
                &&& event is Error ==> final(app).connection->Some_0.state == ConnState::Error(
                    event->Error_0,
                )
                &&& event is Done ==> final(app).connection->Some_0.state == ConnState::Done(
                    event->Done_0,
                )
                &&& event is Status ==> match old(app).connection->Some_0.state {
                    ConnState::Client { .. } => final(app).connection->Some_0.state
                        == ConnState::Client { status: event->Status_0 },
                    _ => final(app).connection->Some_0.state == ConnState::Room {
                        status: event->Status_0,
                    },
                }
            }
        }),
{
    if event is SlotData {
        let slots = old(app).world.slots@;
        let name = event->SlotData_0@;
        lemma_slot_named(slots, name);
        assert forall|at: int|
            0 <= at < slots.len() && (#[trigger] slots[at]).name@ == name && (forall|k: int|
                0 <= k < at ==> (#[trigger] slots[k]).name@ != name) implies slot_named(slots, name)
            == at by {
            if slot_named(slots, name) < at {
                assert(slots[slot_named(slots, name) as int].name@ != name);
            }
        }
    }
}

/// A world with changes that are not saved is replaced only where the user has
/// agreed. The new world is the one that was asked for, without such changes and
/// without the old connection, and its rows are to be scanned.
pub proof fn law_unsaved_world_is_kept(
    app: &mut App,
    path: Option<NativePath>,
    world: WorldFile,
    agreed: bool,
)
    requires
        old(app).wf(),
        call_ensures(App::load_world, (app, path, world, agreed), ()),
    ensures
        old(app).world_dirty && !agreed ==> *final(app) == *old(app),
        !old(app).world_dirty || agreed ==> {
            &&& final(app).world == world
            &&& final(app).world_path == path
            &&& !final(app).world_dirty
            &&& final(app).connection is None
            &&& final(app).slot_searcher.stale_inventory_or_type_filter
            &&& final(app).slot_focus == old(app).slot_focus
        },
{
}

/// The program starts with the world that was open last, or with an empty one, and
/// without changes or a connection.
pub proof fn law_start(restored: Option<(NativePath, WorldFile)>, app: App)
    requires
        call_ensures(App::new, (restored,), app),
    ensures
        restored is Some ==> app.world == restored->Some_0.1 && app.world_path == Some(
            restored->Some_0.0,
        ),
        restored is None ==> app.world.slots@.len() == 0 && app.world.name@.len() == 0
            && app.world.address@.len() == 0 && app.world.password@.len() == 0
            && app.world.conn_type is Room && app.world_path is None,
        !app.world_dirty,
        app.connection is None,
        app.slot_focus == 0,
        app.slot_searcher.stale_inventory_or_type_filter,
{
}

/// A world is saved to its file, if it has one and no other is asked for; else the
/// user picks one, with the world's name as a proposal.
pub proof fn law_where_a_world_is_saved(app: &App, save_as: bool, r: SaveTarget)
    requires
        call_ensures(App::save_target, (app, save_as), r),
    ensures
        r is Write == (app.world_path is Some && !save_as),
        r is Write ==> Some(*r->Write_0) == app.world_path,
        r is Pick ==> r->Pick_0@ == app.world.name@ + ".json"@,
{
}

/// A world counts as saved only where it could be written, and nothing but that
/// changes.
pub proof fn law_failed_save_keeps_changes(app: &mut App, success: bool)
    requires
        call_ensures(App::saved, (app, success), ()),
    ensures
        success ==> !final(app).world_dirty,
        !success ==> final(app).world_dirty == old(app).world_dirty,
        final(app).world == old(app).world,
        final(app).world_path == old(app).world_path,
        final(app).connection == old(app).connection,
        final(app).slot_focus == old(app).slot_focus,
{
}

/// The title is the world's name, with an asterisk where there are changes that
/// are not saved. It is given out where it is another than the last.
pub proof fn law_title_shows_unsaved_changes(app: &mut App, r: Option<String>)
    requires
        call_ensures(App::update_window_title, (app,), r),
    ensures
        ({
            let title = old(app).world.name@ + (if old(app).world_dirty {
                "* - archiinventory"@
            } else {
                " - archiinventory"@
            });
            &&& final(app).prev_window_title@ == title
            &&& r is Some == (title != old(app).prev_window_title@)
            &&& r is Some ==> r->Some_0@ == title
        }),
        final(app).world == old(app).world,
        final(app).world_dirty == old(app).world_dirty,
{
    reveal_strlit("*");
    reveal_strlit("");
    reveal_strlit(" - archiinventory");
    reveal_strlit("* - archiinventory");
    assert("*"@ + " - archiinventory"@ =~= "* - archiinventory"@);
    let name = old(app).world.name@;
    assert(name + "*"@ + " - archiinventory"@ =~= name + ("*"@ + " - archiinventory"@));
    assert(name + ""@ + " - archiinventory"@ =~= name + " - archiinventory"@);
}

/// Before the window closes, the user is asked exactly where changes would be
/// lost; the answer saves, closes without saving, or keeps the window.
pub proof fn law_closing_asks(
    app: &App,
    requested: bool,
    asks: bool,
    answer: CloseAnswer,
    action: CloseAction,
)
    requires
        call_ensures(App::asks_before_close, (app, requested), asks),
        call_ensures(close_action, (answer,), action),
    ensures
        asks == (requested && app.world_dirty),
        answer is Yes ==> action is Save,
        answer is No ==> action is Close,
        answer is Cancel ==> action is Stay,
{
}

/// While a worker is at work, it can be cancelled; else a refresh can be asked for
/// where a slot is active.
pub proof fn law_button_of_the_connection(app: &App, r: ConnButton)
    requires
        call_ensures(App::conn_button, (app,), r),
    ensures
        r is Cancel == (app.connection is Some && (app.connection->Some_0.state is Client
            || app.connection->Some_0.state is Room)),
        r is Refresh ==> r->Refresh_enabled == exists|i: int|
            0 <= i < app.world.slots@.len() && (#[trigger] app.world.slots@[i]).active,
{
}

/// To cancel drops the connection, to connect takes another, and neither touches
/// the world.
pub proof fn law_connection_is_set(a: &mut App, b: &mut App, connection: Connection)
    requires
        call_ensures(App::cancel, (a,), ()),
        call_ensures(App::set_connection, (b, connection), ()),
    ensures
        final(a).connection is None,
        final(a).world == old(a).world,
        final(a).world_dirty == old(a).world_dirty,
        final(a).slot_searcher == old(a).slot_searcher,
        final(b).connection == Some(connection),
        final(b).world == old(b).world,
        final(b).world_dirty == old(b).world_dirty,
        final(b).slot_searcher == old(b).slot_searcher,
{
}

/// Another way to reach the world is a change that is to be saved.
pub proof fn law_way_is_chosen(app: &mut App, conn_type: WorldConnType)
    requires
        call_ensures(App::set_conn_type, (app, conn_type), ()),
    ensures
        final(app).world.conn_type == conn_type,
        final(app).world_dirty,
        final(app).world.slots == old(app).world.slots,
        final(app).world.address == old(app).world.address,
        final(app).world.name == old(app).world.name,
        final(app).connection == old(app).connection,
{
}

/// A panic of the worker is an error of the connection, with the panic's own words
/// where it has any.
pub proof fn law_panic_is_an_error(app: &mut App, message: Option<String>)
    requires
        call_ensures(App::on_panic, (app, message), ()),
    ensures
        old(app).connection is Some && (old(app).connection->Some_0.state is Client || old(app).connection->Some_0.state is Room) ==> {
            &&& final(app).connection is Some
            &&& final(app).connection->Some_0.state is Error
            &&& message is Some ==> final(app).connection->Some_0.state->Error_0@
                == message->Some_0@
            &&& message is None ==> final(app).connection->Some_0.state->Error_0@
                == "thread panic with non-string message"@
        },
        final(app).world == old(app).world,
        final(app).world_dirty == old(app).world_dirty,
{
}

/// What a row does to its slot: the key for it turns the slot on or off, and
/// nothing else in the world changes before the pass has ended.
pub proof fn law_row_changes_its_slot_only(
    app: &mut App,
    pass: &mut SlotPass,
    i: usize,
    input: SlotInput,
    above: bool,
)
    requires
        old(app).wf(),
        i < old(app).world.slots@.len(),
        action_fits(old(pass).action, old(app).world.slots@.len() as int),
        call_ensures(App::slot_row, (app, pass, i, input), above),
    ensures
        final(app).world.slots@.len() == old(app).world.slots@.len(),
        forall|k: int|
            0 <= k < old(app).world.slots@.len() && k != i ==> #[trigger] final(app).world.slots@[k] == old(app).world.slots@[k],
        ({
            let before = old(app).world.slots@[i as int];
            let after = final(app).world.slots@[i as int];
            let turned = input.keys is Some && input.keys->Some_0.toggle;
            &&& turned ==> after.active == !before.active
            &&& !turned ==> after.active == before.active
            &&& after.name == before.name
            &&& after.confirmed == before.confirmed
            &&& after.total_items == before.total_items
            &&& after.inventory == before.inventory
            &&& final(pass).changed == (old(pass).changed || input.edited || turned)
        }),
        input.viewed ==> final(app).slot_focus == i && final(app).slot_searcher.stale_inventory_or_type_filter,
        !input.viewed ==> final(app).slot_focus == old(app).slot_focus && final(app).slot_searcher
            == old(app).slot_searcher,
        final(app).world_dirty == old(app).world_dirty,
        final(app).connection == old(app).connection,
        final(app).world_path == old(app).world_path,
{
}

/// What the keys in a row ask for: to move the slot up or down where there is a row
/// to change places with, to delete it where its name was empty, and to bring the
/// keyboard to the row above or below where there is one.
pub proof fn law_what_keys_ask_for(
    app: &mut App,
    pass: &mut SlotPass,
    i: usize,
    input: SlotInput,
    above: bool,
)
    requires
        old(app).wf(),
        i < old(app).world.slots@.len(),
        action_fits(old(pass).action, old(app).world.slots@.len() as int),
        call_ensures(App::slot_row, (app, pass, i, input), above),
    ensures
        input.keys is None ==> !above && final(pass).action == old(pass).action && final(pass).next_focus == old(pass).next_focus,
        input.keys is Some ==> {
            let keys = input.keys->Some_0;
            let first = i == 0;
            let last = i == old(app).world.slots@.len() - 1;
            let deleted = keys.delete && input.was_empty;
            &&& deleted ==> final(pass).action == SlotAction::Remove(i)
            &&& !deleted && keys.move_down && !last ==> final(pass).action == SlotAction::Swap(
                i,
                (i + 1) as usize,
            )
            &&& !deleted && !(keys.move_down && !last) && keys.move_up && !first ==> final(pass).action == SlotAction::Swap((i - 1) as usize, i)
            &&& !deleted && !(keys.move_down && !last) && !(keys.move_up && !first) ==> final(pass).action == old(pass).action
            &&& final(pass).next_focus == (old(pass).next_focus || (!last && (keys.down
                || keys.move_down)))
            &&& above == (!first && (keys.up || keys.move_up || (deleted && last)))
        },
{
}

/// A pass begins with nothing asked for, and the keyboard comes to one row at
/// most for each time that it is asked for.
pub proof fn law_pass_begins(fresh: SlotPass, pass: &mut SlotPass, taken: bool)
    requires
        call_ensures(SlotPass::new, (), fresh),
        call_ensures(SlotPass::take_focus, (pass,), taken),
    ensures
        fresh.action is Keep,
        !fresh.next_focus,
        !fresh.changed,
        taken == old(pass).next_focus,
        !final(pass).next_focus,
        final(pass).action == old(pass).action,
        final(pass).changed == old(pass).changed,
{
}

/// The end of a pass does what was asked for: two slots change places, or one is
/// gone and those behind it move up, and all others are where they were. The slot
/// in view is followed where it changes places.
pub proof fn law_end_of_a_pass(app: &mut App, pass: SlotPass)
    requires
        old(app).wf(),
        action_fits(pass.action, old(app).world.slots@.len() as int),
        call_ensures(App::end_rows, (app, pass), ()),
    ensures
        ({
            let before = old(app).world.slots@;
            let after = final(app).world.slots@;
            match pass.action {
                SlotAction::Keep => after == before && final(app).slot_focus == old(app).slot_focus,
                SlotAction::Swap(a, b) => {
                    &&& after.len() == before.len()
                    &&& after[a as int] == before[b as int]
                    &&& after[b as int] == before[a as int]
                    &&& forall|k: int|
                        0 <= k < before.len() && k != a && k != b ==> #[trigger] after[k]
                            == before[k]
                    &&& old(app).slot_focus == a ==> final(app).slot_focus == b
                    &&& old(app).slot_focus == b ==> final(app).slot_focus == a
                    &&& old(app).slot_focus != a && old(app).slot_focus != b ==> final(app).slot_focus == old(app).slot_focus
                },
                SlotAction::Remove(i) => {
                    &&& after.len() == before.len() - 1
                    &&& forall|k: int| 0 <= k < i ==> #[trigger] after[k] == before[k]
                    &&& forall|k: int| i <= k < after.len() ==> #[trigger] after[k] == before[k + 1]
                    &&& final(app).slot_focus == old(app).slot_focus
                },
            }
        }),
        final(app).world_dirty == (old(app).world_dirty || pass.changed || pass.action is Swap
            || pass.action is Remove),
        final(app).slot_searcher == old(app).slot_searcher,
        final(app).connection == old(app).connection,
        final(app).world.name == old(app).world.name,
        final(app).world.address == old(app).world.address,
{
}

/// Sorting puts the names in alphabetical order, as the search compares them.
/// Slots with equal names stay in their order, none is lost and none is added, and
/// the world is to be saved.
pub proof fn law_slots_sorted_by_name(app: &mut App, i: int, j: int)
    requires
        old(app).wf(),
        call_ensures(App::sort_slots, (app,), ()),
        0 <= i < j < final(app).world.slots@.len(),
    ensures
        final(app).world.slots@.to_multiset() == old(app).world.slots@.to_multiset(),
        ({
            let a = case_folded(nfkc(final(app).world.slots@[i].name@));
            let b = case_folded(nfkc(final(app).world.slots@[j].name@));
            &&& a == b || lex_lt(a, b)
            &&& exists|x: int, y: int|
                0 <= x < old(app).world.slots@.len() && 0 <= y < old(app).world.slots@.len() && x
                    != y && final(app).world.slots@[i] == #[trigger] old(app).world.slots@[x]
                    && final(app).world.slots@[j] == #[trigger] old(app).world.slots@[y] && (a == b
                    ==> x < y)
        }),
        final(app).world_dirty,
        final(app).slot_focus == old(app).slot_focus,
{
    let items = old(app).world.slots@;
    let keys = items.map_values(|slot: WorldFileSlot| normal_form(slot.name@));
    let sorted = final(app).world.slots@;
    law_sort_keeps_items(items, keys, sorted);
    let p = choose|p: Seq<usize>| #[trigger]
        stable_order(keys, p) && sorted == arranged(items, p);
    let x = p[i] as int;
    let y = p[j] as int;
    assert(key_before(keys, x, y));
    assert(sorted[i] == items[x]);
    assert(sorted[j] == items[y]);
    assert(keys[x] == normal_form(items[x].name@));
    assert(keys[y] == normal_form(items[y].name@));
    lemma_lex_irreflexive(keys[x]);
}

/// A new slot stands behind the others. It has no name and no items, it is active,
/// and the others are as they were.
pub proof fn law_new_slot_comes_last(app: &mut App)
    requires
        old(app).wf(),
        call_ensures(App::add_slot, (app,), ()),
    ensures
        final(app).world.slots@.len() == old(app).world.slots@.len() + 1,
        forall|k: int|
            0 <= k < old(app).world.slots@.len() ==> #[trigger] final(app).world.slots@[k] == old(app).world.slots@[k],
        ({
            let added = final(app).world.slots@[old(app).world.slots@.len() as int];
            &&& added.name@.len() == 0
            &&& added.active
            &&& added.confirmed == 0
            &&& added.total_items == 0
            &&& added.inventory@.len() == 0
        }),
        final(app).world_dirty,
        final(app).slot_focus == old(app).slot_focus,
        final(app).connection == old(app).connection,
{
    assert forall|k: int| 0 <= k < old(app).world.slots@.len() implies #[trigger] final(app).world.slots@[k] == old(app).world.slots@[k] by {
        assert(final(app).world.slots@.drop_last()[k] == final(app).world.slots@[k]);
    }
}

/// The keys for the previous and the next slot move by one, and stop at the first
/// and at the last slot. Where another slot comes into view, its rows are to be
/// scanned; where the same stays in view, the world and what the user has chosen
/// stay.
pub proof fn law_navigation(app: &mut App, up: bool, down: bool, r: Option<usize>)
    requires
        old(app).wf(),
        call_ensures(App::navigate, (app, up, down), r),
    ensures
        old(app).world.slots@.len() == 0 ==> r is None && *final(app) == *old(app),
        old(app).world.slots@.len() > 0 ==> {
            let last = old(app).world.slots@.len() - 1;
            let focus = old(app).slot_focus;
            let now = final(app).slot_focus;
            &&& r == Some(now)
            &&& now <= last
            &&& focus <= last && !up && !down ==> now == focus
            &&& focus <= last && up && !down ==> now == if focus == 0 {
                0
            } else {
                focus - 1
            }
            &&& focus <= last && down && !up ==> now == if focus == last {
                last
            } else {
                focus + 1
            }
            &&& focus <= last && up && down && focus > 0 ==> now == focus
            &&& focus > last ==> now == last
            &&& now != focus || down ==> final(app).slot_searcher.stale_inventory_or_type_filter
            &&& now == focus && !up && !down ==> final(app).slot_searcher == old(app).slot_searcher
        },
        final(app).world == old(app).world,
        final(app).world_dirty == old(app).world_dirty,
        final(app).slot_searcher.filter_type == old(app).slot_searcher.filter_type,
        final(app).slot_searcher.filter_name == old(app).slot_searcher.filter_name,
        final(app).slot_searcher.sort_order == old(app).slot_searcher.sort_order,
{
}

/// Confirming the slot in view leaves it without new items and the others as they
/// were, and is a change that is to be saved.
pub proof fn law_slot_in_view_confirmed(app: &mut App)
    requires
        old(app).wf(),
        old(app).slot_focus < old(app).world.slots@.len(),
        call_ensures(App::confirm_focused, (app,), ()),
    ensures
        final(app).world.slots@.len() == old(app).world.slots@.len(),
        ({
            let at = old(app).slot_focus as int;
            let before = old(app).world.slots@[at];
            let after = final(app).world.slots@[at];
            &&& after.confirmed == before.total_items
            &&& after.total_items == before.total_items
            &&& after.inventory == before.inventory
            &&& after.name == before.name
            &&& after.active == before.active
            &&& forall|k: int|
                0 <= k < old(app).world.slots@.len() && k != at ==> #[trigger] final(app).world.slots@[k] == old(app).world.slots@[k]
        }),
        final(app).world_dirty,
        final(app).slot_focus == old(app).slot_focus,
{
}

/// The rows that are shown are those of the slot in view: after anything has
/// changed, each group of its inventory is described under the filter and the
/// confirmation of that slot.
pub proof fn law_rows_of_the_slot_in_view(app: &mut App, i: int)
    requires
        old(app).wf(),
        old(app).slot_focus < old(app).world.slots@.len(),
        old(app).slot_searcher.stale_inventory_or_type_filter,
        call_ensures(App::refresh_rows, (app,), ()),
        0 <= i < old(app).world.slots@[old(app).slot_focus as int].inventory@.len(),
    ensures
        ({
            let slot = old(app).world.slots@[old(app).slot_focus as int];
            &&& final(app).slot_searcher.row_stats@.len() == slot.inventory@.len()
            &&& tells_of(
                final(app).slot_searcher.row_stats@[i],
                slot.inventory@[i],
                old(app).slot_searcher.filter_type@,
                slot.confirmed as int,
            )
        }),
        final(app).world == old(app).world,
        final(app).world_dirty == old(app).world_dirty,
{
    let slot = old(app).world.slots@[old(app).slot_focus as int];
    lemma_tells_of(
        final(app).slot_searcher.row_stats@[i],
        slot.inventory@[i],
        old(app).slot_searcher.filter_type@,
        slot.confirmed as int,
    );
}

/// The view button shows how many items have come since the last confirmation,
/// where there are any.
pub proof fn law_view_button_counts_new_items(slot: &WorldFileSlot, fresh: usize, r: String)
    requires
        call_ensures(WorldFileSlot::new_items, (slot,), fresh),
        call_ensures(view_text, (slot,), r),
    ensures
        slot.total_items <= slot.confirmed ==> fresh == 0,
        slot.total_items > slot.confirmed ==> fresh == slot.total_items - slot.confirmed,
        fresh == 0 ==> r@ == "\u{2796}"@,
        fresh > 0 ==> r@ == "\u{271A} "@ + decimal(fresh as nat),
{
}

/// What is kept for the next start is the stored form of the world's file.
pub proof fn law_place_is_kept(app: &App, cache: &mut StringCache, r: Option<String>, path: String)
    requires
        old(cache).wf(),
        call_ensures(App::save, (app, cache), r),
        app.world_path is Some ==> call_ensures(encode_path, (&app.world_path->Some_0,), path),
    ensures
        r is Some == app.world_path is Some,
        r is Some ==> r->Some_0@ == path@,
{
}

} // verus!
