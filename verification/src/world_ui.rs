//! A window for a plain world: its slots can be named, moved, sorted and
//! deleted, and one of them is in view.

use vstd::prelude::*;

use crate::data::{texts, z85_text};
use crate::order::arranged;
use crate::os_path::{encode_path, path_bytes, OsPath};
use crate::slots::{
    followed, key_before, law_sort_keeps_items, sort_by_keys, sorted_by, stable_order, swap_items,
    swapped,
};
use crate::text::{joined, lemma_lex_irreflexive, lex_lt};
use crate::world::{
    drawn, ids_distinct, is_new_world, IdSource, InstanceLocalId, World, WorldSlot,
};

verus! {

broadcast use vstd::string::group_string_axioms;

/// The state of the window.
#[derive(Debug)]
pub struct App {
    pub world_path: Option<OsPath>,
    pub world: World,
    /// Whether the world has changes that are not saved.
    pub world_dirty: bool,
    /// The slot in view.
    pub world_focus: Option<usize>,
}

/// What the user has asked to be done with the list of slots.
#[derive(Debug, Clone, Copy, PartialEq, Eq, Structural)]
pub enum SlotAction {
    Keep,
    /// The name of this slot gets the keyboard focus.
    Focus(usize),
    Swap(usize, usize),
    Delete(usize),
}

/// What was clicked and edited in the row of one slot.
#[derive(Debug, Clone, Copy, PartialEq, Eq, Structural)]
pub struct RowClicks {
    pub delete: bool,
    pub up: bool,
    pub down: bool,
    pub view: bool,
    /// The name has been changed.
    pub edited: bool,
}

/// One pass over the rows of all slots.
#[derive(Debug, Clone, Copy, PartialEq, Eq, Structural)]
pub struct RowPass {
    pub action: SlotAction,
    pub modified: bool,
}

impl RowPass {
    /// A pass before the first row.
    pub fn new() -> (r: Self)
        ensures
            r == (RowPass { action: SlotAction::Keep, modified: false }),
    {
        RowPass { action: SlotAction::Keep, modified: false }
    }
}

/// The title of the window.
pub open spec fn plain_title(name: Seq<char>) -> Seq<char> {
    name + " - archiinventory"@
}

/// Whether an action speaks of slots that exist.
pub open spec fn action_fits(action: SlotAction, len: int) -> bool {
    match action {
        SlotAction::Keep => true,
        SlotAction::Focus(_) => true,
        SlotAction::Swap(a, b) => a < len && b < len,
        SlotAction::Delete(i) => i < len,
    }
}

/// Whether the clicks are on buttons that the row at `i` of `len` has.
pub open spec fn clicks_fit(clicks: RowClicks, i: int, len: int) -> bool {
    &&& 0 <= i < len
    &&& clicks.up ==> i > 0
    &&& clicks.down ==> i < len - 1
}

/// What is to be done with the slots after a row: the last request counts.
pub open spec fn row_action(action: SlotAction, i: int, clicks: RowClicks) -> SlotAction {
    if clicks.down {
        SlotAction::Swap(i as usize, (i + 1) as usize)
    } else if clicks.up {
        SlotAction::Swap((i - 1) as usize, i as usize)
    } else if clicks.delete {
        SlotAction::Delete(i as usize)
    } else {
        action
    }
}

/// Where the slot in view is after a slot at `i` was deleted. The slot behind
/// a deleted one takes its place.
pub open spec fn focus_after_delete(focus: int, i: int) -> int {
    if focus > i {
        focus - 1
    } else {
        focus
    }
}

/// The slot in view after the clicks in a row.
pub open spec fn row_focus(focus: Option<usize>, i: int, clicks: RowClicks) -> Option<usize> {
    if clicks.view {
        Some(i as usize)
    } else {
        match focus {
            None => None,
            Some(at) => {
                let kept = if clicks.delete {
                    focus_after_delete(at as int, i)
                } else {
                    at as int
                };
                let raised = if clicks.up {
                    followed(kept, i - 1, i)
                } else {
                    kept
                };
                let lowered = if clicks.down {
                    followed(raised, i, i + 1)
                } else {
                    raised
                };
                Some(lowered as usize)
            },
        }
    }
}

impl App {
    /// The state that the program starts with: the world that was open last,
    /// where it could be loaded, or a new one.
    pub fn new(restored: Option<(World, OsPath)>) -> (r: Self)
        ensures
            match restored {
                Some(found) => r.world == found.0 && r.world_path == Some(found.1),
                None => is_new_world(r.world) && r.world_path is None,
            },
            !r.world_dirty,
            r.world_focus is None,
    {
        let (world, world_path) = match restored {
            Some((world, path)) => (world, Some(path)),
            None => (World::default(), None),
        };
        App { world_path, world, world_dirty: false, world_focus: None }
    }

    /// The title of the window.
    pub fn title(&self) -> (r: String)
        ensures
            r@ == plain_title(self.world.name@),
    {
        joined(self.world.name.as_str(), " - archiinventory")
    }

    /// Takes another world, from a file or a new one. Where the old one has
    /// changes that are not saved, only if the user has agreed to lose them.
    pub fn load(&mut self, path: Option<OsPath>, world: World, agreed: bool)
        ensures
            if !old(self).world_dirty || agreed {
                *final(self) == (App {
                    world_path: path,
                    world,
                    world_dirty: false,
                    world_focus: None,
                })
            } else {
                *final(self) == *old(self)
            },
    {
        if !self.world_dirty || agreed {
            self.world_path = path;
            self.world = world;
            self.world_dirty = false;
            self.world_focus = None;
        }
    }

    /// Whether there is anything to save, and where.
    pub fn can_save(&self) -> (r: bool)
        ensures
            r == (self.world_path is Some && self.world_dirty),
    {
        self.world_path.is_some() && self.world_dirty
    }

    /// Takes the file that the user has chosen for the world.
    pub fn set_path(&mut self, path: OsPath)
        ensures
            *final(self) == (App { world_path: Some(path), ..*old(self) }),
    {
        self.world_path = Some(path);
    }

    /// Takes over whether the world could be written.
    pub fn saved(&mut self, success: bool)
        ensures
            *final(self) == (App {
                world_dirty: old(self).world_dirty && !success,
                ..*old(self)
            }),
    {
        if success {
            self.world_dirty = false;
        }
    }

    /// Whether the user has to be asked before the window closes.
    pub fn asks_before_close(&self, close_requested: bool) -> (r: bool)
        ensures
            r == (close_requested && self.world_dirty),
    {
        close_requested && self.world_dirty
    }

    /// Notes that the world has changes that are not saved.
    pub fn modified_world(&mut self)
        ensures
            *final(self) == (App { world_dirty: true, ..*old(self) }),
    {
        self.world_dirty = true;
    }

    /// Takes over the clicks in the row of slot `i`. Returns whether the slot's
    /// name gets the keyboard focus.
    pub fn slot_name_ui(&mut self, pass: &mut RowPass, i: usize, clicks: RowClicks) -> (r: bool)
        requires
            clicks_fit(clicks, i as int, old(self).world.slots@.len() as int),
            action_fits(old(pass).action, old(self).world.slots@.len() as int),
        ensures
            action_fits(final(pass).action, final(self).world.slots@.len() as int),
            *final(self) == (App {
                world_focus: row_focus(old(self).world_focus, i as int, clicks),
                ..*old(self)
            }),
            *final(pass) == (RowPass {
                action: row_action(old(pass).action, i as int, clicks),
                modified: old(pass).modified || clicks.edited,
            }),
            r == (final(pass).action == SlotAction::Focus(i)),
    {
        let len: usize = self.world.slots.len();
        if clicks.delete {
            pass.action = SlotAction::Delete(i);
            if let Some(at) = self.world_focus {
                if at > i {
                    self.world_focus = Some(at - 1);
                }
            }
        }
        if clicks.up {
            pass.action = SlotAction::Swap(i - 1, i);
            if let Some(at) = self.world_focus {
                if at == i {
                    self.world_focus = Some(at - 1);
                } else if at == i - 1 {
                    self.world_focus = Some(at + 1);
                }
            }
        }
        if clicks.down {
            assert(i + 1 < len);
            pass.action = SlotAction::Swap(i, i + 1);
            if let Some(at) = self.world_focus {
                if at == i {
                    self.world_focus = Some(at + 1);
                } else if at == i + 1 {
                    self.world_focus = Some(at - 1);
                }
            }
        }
        if clicks.view {
            self.world_focus = Some(i);
        }
        if clicks.edited {
            pass.modified = true;
        }
        match pass.action {
            SlotAction::Focus(at) => at == i,
            _ => false,
        }
    }

    /// Ends a pass over the rows: does what was asked for with the slots, and
    /// notes whether anything was changed.
    pub fn end_rows(&mut self, pass: RowPass)
        requires
            action_fits(pass.action, old(self).world.slots@.len() as int),
        ensures
            final(self).world.slots@ == match pass.action {
                SlotAction::Keep | SlotAction::Focus(_) => old(self).world.slots@,
                SlotAction::Swap(a, b) => swapped(old(self).world.slots@, a as int, b as int),
                SlotAction::Delete(i) => old(self).world.slots@.remove(i as int),
            },
            *final(self) == (App {
                world: World { slots: final(self).world.slots, ..old(self).world },
                world_dirty: old(self).world_dirty || pass.modified || pass.action is Swap
                    || pass.action is Delete,
                ..*old(self)
            }),
    {
        let mut modified = pass.modified;
        match pass.action {
            SlotAction::Keep | SlotAction::Focus(_) => {},
            SlotAction::Delete(i) => {
                let _ = self.world.slots.remove(i);
                modified = true;
            },
            SlotAction::Swap(a, b) => {
                swap_items(&mut self.world.slots, a, b);
                modified = true;
            },
        }
        if modified {
            self.modified_world();
        }
    }

    /// Adds a new slot behind the others, whose name gets the keyboard focus.
    pub fn add_slot(&mut self, pass: &mut RowPass, source: &mut IdSource)
        ensures
            *final(pass) == (RowPass {
                action: SlotAction::Focus(old(self).world.slots@.len() as usize),
                modified: true,
            }),
            final(source).next == drawn(old(source).next, 1),
            final(self).world.slots@.len() == old(self).world.slots@.len() + 1,
            final(self).world.slots@.drop_last() == old(self).world.slots@,
            final(self).world.slots@.last().name@ == Seq::<char>::empty(),
            final(self).world.slots@.last().id.0 == old(source).next,
            *final(self) == (App {
                world: World { slots: final(self).world.slots, ..old(self).world },
                ..*old(self)
            }),
    {
        pass.action = SlotAction::Focus(self.world.slots.len());
        pass.modified = true;
        self.world.slots.push(WorldSlot::new(source));
        assert(self.world.slots@.drop_last() =~= old(self).world.slots@);
    }

    /// The slot in view, if there is one.
    pub fn focused(&self) -> (r: Option<&WorldSlot>)
        ensures
            match self.world_focus {
                Some(at) if at < self.world.slots@.len() => r == Some(
                    &self.world.slots@[at as int],
                ),
                _ => r is None,
            },
    {
        match self.world_focus {
            Some(at) => {
                if at < self.world.slots.len() {
                    Some(&self.world.slots[at])
                } else {
                    None
                }
            },
            None => None,
        }
    }

    /// What is to be kept for the next start: the place of the world.
    pub fn save(&self, tag: &str) -> (r: Option<String>)
        ensures
            match self.world_path {
                Some(path) => r is Some && r->Some_0@ == tag@ + ","@ + z85_text(path_bytes(path)),
                None => r is None,
            },
    {
        match &self.world_path {
            Some(path) => Some(encode_path(path, tag)),
            None => None,
        }
    }
}

/// The names of slots.
pub open spec fn slot_names(slots: Seq<WorldSlot>) -> Seq<Seq<char>> {
    slots.map_values(|slot: WorldSlot| slot.name@)
}

/// The position of the first slot with a number, if there is one.
pub open spec fn slot_with_id(slots: Seq<WorldSlot>, id: InstanceLocalId) -> Option<usize>
    decreases slots.len(),
{
    if slots.len() == 0 {
        None
    } else {
        match slot_with_id(slots.drop_last(), id) {
            Some(at) => Some(at),
            None => if slots.last().id == id {
                Some((slots.len() - 1) as usize)
            } else {
                None
            },
        }
    }
}

/// The number of the slot in view, if there is one.
pub open spec fn focused_id(app: App) -> Option<InstanceLocalId> {
    match app.world_focus {
        Some(at) if at < app.world.slots@.len() => Some(app.world.slots@[at as int].id),
        _ => None,
    }
}

/// Copies of the names of slots.
pub fn names_of(slots: &Vec<WorldSlot>) -> (r: Vec<String>)
    ensures
        texts(r@) == slot_names(slots@),
{
    let mut names: Vec<String> = Vec::new();
    let mut i: usize = 0;
    while i < slots.len()
        invariant
            i <= slots@.len(),
            names@.len() == i,
            forall|k: int| 0 <= k < i ==> (#[trigger] names@[k])@ == slots@[k].name@,
        decreases slots@.len() - i,
    {
        names.push(slots[i].name.clone());
        i += 1;
    }
    assert(texts(names@) =~= slot_names(slots@));
    names
}

fn find_id(slots: &Vec<WorldSlot>, id: InstanceLocalId) -> (r: Option<usize>)
    ensures
        r == slot_with_id(slots@, id),
{
    let mut i: usize = 0;
    let ghost all = slots@;
    while i < slots.len()
        invariant
            all == slots@,
            i <= slots@.len(),
            slot_with_id(all.take(i as int), id) is None,
        decreases slots@.len() - i,
    {
        assert(all.take(i + 1).drop_last() =~= all.take(i as int));
        if slots[i].id == id {
            proof {
                assert(slot_with_id(all.take(i + 1), id) == Some(i));
                lemma_id_stays(all, id, i + 1, all.len() as int);
                assert(all.take(all.len() as int) =~= all);
            }
            return Some(i);
        }
        i += 1;
    }
    assert(all.take(i as int) =~= all);
    None
}

proof fn lemma_id_stays(slots: Seq<WorldSlot>, id: InstanceLocalId, n: int, m: int)
    requires
        0 <= n <= m <= slots.len(),
        slot_with_id(slots.take(n), id) is Some,
    ensures
        slot_with_id(slots.take(m), id) == slot_with_id(slots.take(n), id),
    decreases m,
{
    if n < m {
        lemma_id_stays(slots, id, n, m - 1);
        assert(slots.take(m).drop_last() =~= slots.take(m - 1));
    }
}

impl App {
    /// Sorts the slots by name; slots of the same name keep their order. The
    /// slot in view stays in view.
    pub fn sort_slots(&mut self, pass: &mut RowPass)
        ensures
            *final(pass) == (RowPass { modified: true, ..*old(pass) }),
            sorted_by(
                old(self).world.slots@,
                slot_names(old(self).world.slots@),
                final(self).world.slots@,
            ),
            final(self).world_focus == match focused_id(*old(self)) {
                Some(id) => slot_with_id(final(self).world.slots@, id),
                None => None,
            },
            *final(self) == (App {
                world: World { slots: final(self).world.slots, ..old(self).world },
                world_focus: final(self).world_focus,
                ..*old(self)
            }),
    {
        let id = match self.focused() {
            Some(slot) => Some(slot.id),
            None => None,
        };
        let keys = names_of(&self.world.slots);
        assert(texts(keys@).len() == slot_names(self.world.slots@).len());
        let mut taken: Vec<WorldSlot> = Vec::new();
        std::mem::swap(&mut taken, &mut self.world.slots);
        self.world.slots = sort_by_keys(taken, &keys);
        self.world_focus = match id {
            Some(id) => find_id(&self.world.slots, id),
            None => None,
        };
        pass.modified = true;
    }
}

/// A slot that is found by its number has it.
pub proof fn lemma_slot_with_id(slots: Seq<WorldSlot>, id: InstanceLocalId)
    requires
        slots.len() <= usize::MAX,
    ensures
        match slot_with_id(slots, id) {
            Some(at) => at < slots.len() && slots[at as int].id == id,
            None => forall|i: int| 0 <= i < slots.len() ==> (#[trigger] slots[i]).id != id,
        },
    decreases slots.len(),
{
    if slots.len() > 0 {
        let rest = slots.drop_last();
        lemma_slot_with_id(rest, id);
        if slot_with_id(slots, id) is None {
            assert forall|i: int| 0 <= i < slots.len() implies (#[trigger] slots[i]).id != id by {
                if i < rest.len() {
                    assert(rest[i] == slots[i]);
                }
            }
        }
    }
}

/// Where the numbers of the slots differ, sorting leaves the same slot in view.
pub proof fn law_sort_keeps_view(pre: App, post: App, at: usize)
    requires
        pre.world_focus == Some(at),
        at < pre.world.slots@.len() <= usize::MAX,
        ids_distinct(pre.world.slots@),
        sorted_by(pre.world.slots@, slot_names(pre.world.slots@), post.world.slots@),
        post.world_focus == slot_with_id(post.world.slots@, pre.world.slots@[at as int].id),
    ensures
        post.world_focus matches Some(now) && now < post.world.slots@.len()
            && post.world.slots@[now as int] == pre.world.slots@[at as int],
{
    let before = pre.world.slots@;
    let after = post.world.slots@;
    let p = choose|p: Seq<usize>| #[trigger]
        crate::slots::stable_order(slot_names(before), p) && after == crate::order::arranged(
            before,
            p,
        );
    crate::slots::lemma_permutation_covers(p);
    assert(p.contains(at));
    let k = p.index_of(at);
    assert(after[k] == before[at as int]);
    lemma_slot_with_id(after, before[at as int].id);
    let now = post.world_focus->Some_0;
    assert(after[now as int] == before[p[now as int] as int]);
    if p[now as int] != at {
        let i = p[now as int] as int;
        if i < at {
            assert(before[i].id != before[at as int].id);
        } else {
            assert(before[at as int].id != before[i].id);
        }
    }
}

/// A slot in view that is neither deleted nor moved stays in view when another
/// slot is deleted.
pub proof fn law_delete_keeps_view(slots: Seq<WorldSlot>, at: int, i: int)
    requires
        0 <= at < slots.len(),
        0 <= i < slots.len(),
        at != i,
    ensures
        slots.remove(i)[focus_after_delete(at, i)] == slots[at],
{
}

/// The slot in view stays in view when it or another slot is moved.
pub proof fn law_move_keeps_view(slots: Seq<WorldSlot>, at: usize, i: int, clicks: RowClicks)
    requires
        at < slots.len() <= usize::MAX,
        clicks_fit(clicks, i, slots.len() as int),
        clicks.up != clicks.down,
        !clicks.delete,
        !clicks.view,
    ensures
        ({
            let action = row_action(SlotAction::Keep, i, clicks);
            let now = row_focus(Some(at), i, clicks);
            &&& action is Swap
            &&& now is Some
            &&& swapped(slots, action->Swap_0 as int, action->Swap_1 as int)[now->Some_0 as int]
                == slots[at as int]
        }),
{
}

/// A world with changes that are not saved is replaced only where the user has
/// agreed; then no slot of the new world is in view.
pub proof fn law_unsaved_world_is_kept(
    app: &mut App,
    path: Option<OsPath>,
    world: World,
    agreed: bool,
)
    requires
        call_ensures(App::load, (app, path, world, agreed), ()),
    ensures
        old(app).world_dirty && !agreed ==> *final(app) == *old(app),
        !old(app).world_dirty || agreed ==> final(app).world == world && final(app).world_path
            == path && !final(app).world_dirty && final(app).world_focus is None,
{
}

/// The window starts with the world that was open last or an empty one, without
/// changes, and without a slot in view.
pub proof fn law_start(restored: Option<(World, OsPath)>, app: App, pass: RowPass)
    requires
        call_ensures(App::new, (restored,), app),
        call_ensures(RowPass::new, (), pass),
    ensures
        restored is Some ==> app.world == restored->Some_0.0 && app.world_path == Some(
            restored->Some_0.1,
        ),
        restored is None ==> app.world.slots@.len() == 0 && app.world.name@.len() == 0
            && app.world_path is None,
        !app.world_dirty,
        app.world_focus is None,
        pass.action is Keep,
        !pass.modified,
{
}

/// When there is something to save, when the user is asked, and what a save and a
/// choice of a file leave.
pub proof fn law_saving(
    app: &App,
    requested: bool,
    asks: bool,
    can: bool,
    a: &mut App,
    success: bool,
    b: &mut App,
    path: OsPath,
    c: &mut App,
)
    requires
        call_ensures(App::asks_before_close, (app, requested), asks),
        call_ensures(App::can_save, (app,), can),
        call_ensures(App::saved, (a, success), ()),
        call_ensures(App::set_path, (b, path), ()),
        call_ensures(App::modified_world, (c,), ()),
    ensures
        asks == (requested && app.world_dirty),
        can == (app.world_dirty && app.world_path is Some),
        success ==> !final(a).world_dirty,
        !success ==> final(a).world_dirty == old(a).world_dirty,
        final(a).world == old(a).world,
        final(a).world_path == old(a).world_path,
        final(a).world_focus == old(a).world_focus,
        final(b).world_path == Some(path),
        final(b).world == old(b).world,
        final(b).world_dirty == old(b).world_dirty,
        final(c).world_dirty,
        final(c).world == old(c).world,
        final(c).world_focus == old(c).world_focus,
{
}

/// What the buttons of a row ask for, of which the last counts: to delete the slot,
/// or to change places with the one above or below. Nothing happens to the slots
/// before the pass has ended. The view follows a slot that is moved, and stays at
/// its place where the slot in view is deleted, so that the next one comes into
/// view.
pub proof fn law_what_buttons_ask_for(
    app: &mut App,
    pass: &mut RowPass,
    i: usize,
    clicks: RowClicks,
    focus: bool,
)
    requires
        clicks_fit(clicks, i as int, old(app).world.slots@.len() as int),
        action_fits(old(pass).action, old(app).world.slots@.len() as int),
        call_ensures(App::slot_name_ui, (app, pass, i, clicks), focus),
    ensures
        clicks.down ==> final(pass).action == SlotAction::Swap(i, (i + 1) as usize),
        clicks.up && !clicks.down ==> final(pass).action == SlotAction::Swap((i - 1) as usize, i),
        clicks.delete && !clicks.up && !clicks.down ==> final(pass).action == SlotAction::Delete(i),
        !clicks.delete && !clicks.up && !clicks.down ==> final(pass).action == old(pass).action,
        final(pass).modified == (old(pass).modified || clicks.edited),
        focus == (old(pass).action == SlotAction::Focus(i) && !clicks.delete && !clicks.up
            && !clicks.down),
        final(app).world == old(app).world,
        final(app).world_dirty == old(app).world_dirty,
        clicks.view ==> final(app).world_focus == Some(i),
        !clicks.view && old(app).world_focus is None ==> final(app).world_focus is None,
        !clicks.view && old(app).world_focus is Some ==> {
            let at = old(app).world_focus->Some_0 as int;
            let kept = if clicks.delete && at > i {
                at - 1
            } else {
                at
            };
            let raised = if clicks.up && kept == i {
                i - 1
            } else if clicks.up && kept == i - 1 {
                i as int
            } else {
                kept
            };
            let lowered = if clicks.down && raised == i {
                i + 1
            } else if clicks.down && raised == i + 1 {
                i as int
            } else {
                raised
            };
            final(app).world_focus == Some(lowered as usize)
        },
{
}

/// The slot in view is the same one after a pass in which another slot was deleted,
/// or in which it or another slot was moved.
pub proof fn law_slot_in_view_is_followed(
    app: &mut App,
    pass: &mut RowPass,
    i: usize,
    clicks: RowClicks,
    focus: bool,
    after: &mut App,
    at: int,
)
    requires
        clicks_fit(clicks, i as int, old(app).world.slots@.len() as int),
        action_fits(old(pass).action, old(app).world.slots@.len() as int),
        call_ensures(App::slot_name_ui, (app, pass, i, clicks), focus),
        *old(after) == *final(app),
        call_ensures(App::end_rows, (after, *final(pass)), ()),
        !clicks.view,
        old(app).world_focus == Some(at as usize),
        0 <= at < old(app).world.slots@.len() <= usize::MAX,
        (clicks.delete && !clicks.up && !clicks.down && at != i) || (clicks.up && !clicks.down
            && !clicks.delete) || (clicks.down && !clicks.up && !clicks.delete),
    ensures
        final(after).world_focus is Some,
        final(after).world_focus->Some_0 < final(after).world.slots@.len(),
        final(after).world.slots@[final(after).world_focus->Some_0 as int] == old(app).world.slots@[at],
        final(after).world_dirty,
{
}

/// The end of a pass does what was asked for: two slots change places, or one is
/// gone and those behind it move up, and all others are where they were.
pub proof fn law_end_of_a_pass(app: &mut App, pass: RowPass)
    requires
        action_fits(pass.action, old(app).world.slots@.len() as int),
        call_ensures(App::end_rows, (app, pass), ()),
    ensures
        ({
            let before = old(app).world.slots@;
            let after = final(app).world.slots@;
            match pass.action {
                SlotAction::Keep | SlotAction::Focus(_) => after == before,
                SlotAction::Swap(a, b) => {
                    &&& after.len() == before.len()
                    &&& after[a as int] == before[b as int]
                    &&& after[b as int] == before[a as int]
                    &&& forall|k: int|
                        0 <= k < before.len() && k != a && k != b ==> #[trigger] after[k]
                            == before[k]
                },
                SlotAction::Delete(i) => {
                    &&& after.len() == before.len() - 1
                    &&& forall|k: int| 0 <= k < i ==> #[trigger] after[k] == before[k]
                    &&& forall|k: int| i <= k < after.len() ==> #[trigger] after[k] == before[k + 1]
                },
            }
        }),
        final(app).world_dirty == (old(app).world_dirty || pass.modified || pass.action is Swap
            || pass.action is Delete),
        final(app).world_focus == old(app).world_focus,
        final(app).world.name == old(app).world.name,
        final(app).world.address == old(app).world.address,
{
}

/// A new slot stands behind the others with a number of its own, its name gets the
/// keyboard, and the world is to be saved.
pub proof fn law_new_slot_comes_last(app: &mut App, pass: &mut RowPass, source: &mut IdSource)
    requires
        call_ensures(App::add_slot, (app, pass, source), ()),
    ensures
        final(app).world.slots@.len() == old(app).world.slots@.len() + 1,
        forall|k: int|
            0 <= k < old(app).world.slots@.len() ==> #[trigger] final(app).world.slots@[k] == old(app).world.slots@[k],
        ({
            let added = final(app).world.slots@[old(app).world.slots@.len() as int];
            added.name@.len() == 0 && added.id.0 == old(source).next
        }),
        final(source).next != old(source).next,
        final(pass).action == SlotAction::Focus(old(app).world.slots@.len() as usize),
        final(pass).modified,
        final(app).world_focus == old(app).world_focus,
{
    assert forall|k: int| 0 <= k < old(app).world.slots@.len() implies #[trigger] final(app).world.slots@[k] == old(app).world.slots@[k] by {
        assert(final(app).world.slots@.drop_last()[k] == final(app).world.slots@[k]);
    }
}

/// Sorting puts the names in alphabetical order; slots with one name stay in their
/// order, and none is lost or added.
pub proof fn law_slots_sorted_by_name(app: &mut App, pass: &mut RowPass, i: int, j: int)
    requires
        call_ensures(App::sort_slots, (app, pass), ()),
        0 <= i < j < final(app).world.slots@.len(),
    ensures
        final(app).world.slots@.to_multiset() == old(app).world.slots@.to_multiset(),
        ({
            let a = final(app).world.slots@[i].name@;
            let b = final(app).world.slots@[j].name@;
            &&& a == b || lex_lt(a, b)
            &&& exists|x: int, y: int|
                0 <= x < old(app).world.slots@.len() && 0 <= y < old(app).world.slots@.len() && x
                    != y && final(app).world.slots@[i] == #[trigger] old(app).world.slots@[x]
                    && final(app).world.slots@[j] == #[trigger] old(app).world.slots@[y] && (a == b
                    ==> x < y)
        }),
        final(pass).modified,
        final(pass).action == old(pass).action,
{
    let items = old(app).world.slots@;
    let keys = slot_names(items);
    let sorted = final(app).world.slots@;
    law_sort_keeps_items(items, keys, sorted);
    let p = choose|p: Seq<usize>| #[trigger]
        stable_order(keys, p) && sorted == arranged(items, p);
    let x = p[i] as int;
    let y = p[j] as int;
    assert(key_before(keys, x, y));
    assert(sorted[i] == items[x]);
    assert(sorted[j] == items[y]);
    assert(keys[x] == items[x].name@);
    assert(keys[y] == items[y].name@);
    lemma_lex_irreflexive(keys[x]);
}

/// The slot in view is the same after sorting, where its number is its own.
pub proof fn law_sorting_keeps_the_view(app: &mut App, pass: &mut RowPass, at: usize)
    requires
        call_ensures(App::sort_slots, (app, pass), ()),
        old(app).world_focus == Some(at),
        at < old(app).world.slots@.len() <= usize::MAX,
        ids_distinct(old(app).world.slots@),
    ensures
        final(app).world_focus is Some,
        final(app).world_focus->Some_0 < final(app).world.slots@.len(),
        final(app).world.slots@[final(app).world_focus->Some_0 as int] == old(app).world.slots@[at as int],
{
    law_sort_keeps_view(*old(app), *final(app), at);
}

/// The slot in view is the one at the place that is in view, where there is one.
pub proof fn law_slot_in_view(app: &App, r: Option<&WorldSlot>, title: String)
    requires
        call_ensures(App::focused, (app,), r),
        call_ensures(App::title, (app,), title),
    ensures
        r is Some == (app.world_focus is Some && app.world_focus->Some_0 < app.world.slots@.len()),
        r is Some ==> *r->Some_0 == app.world.slots@[app.world_focus->Some_0 as int],
        title@ == app.world.name@ + " - archiinventory"@,
{
}

/// What is kept for the next start is the stored form of the world's file.
pub proof fn law_place_is_kept(app: &App, tag: &str, r: Option<String>, path: String)
    requires
        call_ensures(App::save, (app, tag), r),
        app.world_path is Some ==> call_ensures(encode_path, (&app.world_path->Some_0, tag), path),
    ensures
        r is Some == app.world_path is Some,
        r is Some ==> r->Some_0@ == path@,
{
}

} // verus!
